use crate::ast::{
    EnumBranchNode, copy_identifier, ident_text, item_name, DeclFunctionNode, FieldsNode, ItemNode, TypeNode,
    WithId,
};
use crate::constrain::constrain;
use crate::error::InferError;
use crate::scope::Scope;
use crate::span::Spanned;
use crate::syntax::{joined_path, transform_syntax_type};
use crate::ty::{fresh_variable, SimpleType, SimpleTypeRef, TypeModel};
use vstd::prelude::*;

verus! {

pub open spec fn item_at(items: Seq<WithId<Spanned<ItemNode>>>, i: int) -> ItemNode {
    items[i].1.1
}

/// Items `a < b` share a name and at least one of them is an enum.
pub open spec fn conflicting(items: Seq<WithId<Spanned<ItemNode>>>, a: int, b: int) -> bool {
    &&& 0 <= a < b < items.len()
    &&& item_name(item_at(items, a)) == item_name(item_at(items, b))
    &&& (item_at(items, a) is DeclEnumNode || item_at(items, b) is DeclEnumNode)
}

pub open spec fn has_conflict(items: Seq<WithId<Spanned<ItemNode>>>) -> bool {
    exists|a: int, b: int| conflicting(items, a, b)
}

/// A core definition annotates every parameter with a type.
pub open spec fn is_core(f: DeclFunctionNode) -> bool {
    forall|k: int| 0 <= k < f.parameters@.len() ==> (#[trigger] f.parameters@[k]).1.1.ty is Some
}

/// How many of the first `upto` items are core definitions of a function named `name`.
pub open spec fn core_count(items: Seq<WithId<Spanned<ItemNode>>>, name: Seq<char>, upto: int) -> nat
    decreases upto,
{
    if upto <= 0 {
        0
    } else {
        core_count(items, name, upto - 1) + (match item_at(items, upto - 1) {
            ItemNode::DeclFunctionNode(f) => if ident_text(f.name) == name && is_core(f) {
                1nat
            } else {
                0nat
            },
            _ => 0nat,
        })
    }
}

/// A field type that always resolves during the scan: `Int` or the name of an enum of the program.
pub open spec fn resolvable_field(items: Seq<WithId<Spanned<ItemNode>>>, t: TypeNode) -> bool {
    &&& t is Path
    &&& (joined_path(t->Path_0.0@) == int_name() || exists|j: int|
        0 <= j < items.len() && #[trigger] item_at(items, j) is DeclEnumNode && item_name(item_at(items, j))
            == joined_path(t->Path_0.0@))
}

/// Every enum branch has no fields or positional fields that resolve.
pub open spec fn fields_supported(items: Seq<WithId<Spanned<ItemNode>>>) -> bool {
    forall|i: int, k: int|
        0 <= i < items.len() && #[trigger] item_at(items, i) is DeclEnumNode && 0 <= k
            < item_at(items, i)->DeclEnumNode_0.branches@.len() ==> {
            let b = #[trigger] item_at(items, i)->DeclEnumNode_0.branches@[k].1.1;
            match b.fields {
                None => true,
                Some(f) => match f.1.1 {
                    FieldsNode::Unnamed(tys) => forall|m: int|
                        0 <= m < tys@.len() ==> resolvable_field(items, #[trigger] tys@[m].1.1),
                    FieldsNode::Named(_) => false,
                },
            }
        }
}

/// Every function name has exactly one core definition.
pub open spec fn cores_unique(items: Seq<WithId<Spanned<ItemNode>>>) -> bool {
    forall|i: int|
        0 <= i < items.len() && #[trigger] item_at(items, i) is DeclFunctionNode ==> core_count(
            items,
            item_name(item_at(items, i)),
            items.len() as int,
        ) == 1
}

pub open spec fn int_name() -> Seq<char> {
    seq!['I', 'n', 't']
}

pub open spec fn duplicate_message(name: Seq<char>) -> Seq<char> {
    "Item \""@ + name + "\" declared multiple times"@
}

pub open spec fn no_core_message(name: Seq<char>) -> Seq<char> {
    "Function \""@ + name + "\" has no core definition"@
}

pub open spec fn multiple_core_message(name: Seq<char>) -> Seq<char> {
    "Function \""@ + name + "\" has multiple core definition"@
}

pub open spec fn named_fields_message() -> Seq<char> {
    "enum variant with named fields is not supported yet"@
}

/// The qualified name of a variant.
pub open spec fn variant_path(root: Seq<char>, variant: Seq<char>) -> Seq<char> {
    root + "."@ + variant
}

/// What a successful scan leaves in the scope.
pub open spec fn scanned(items: Seq<WithId<Spanned<ItemNode>>>, s: Scope) -> bool {
    &&& s.wf()
    &&& s.names().dom().contains(int_name())
    &&& forall|i: int|
        0 <= i < items.len() && #[trigger] item_at(items, i) is DeclEnumNode ==> s.names().dom().contains(
            item_name(item_at(items, i)),
        )
    &&& forall|i: int, k: int|
        0 <= i < items.len() && #[trigger] item_at(items, i) is DeclEnumNode && 0 <= k
            < item_at(items, i)->DeclEnumNode_0.branches@.len() ==> s.names().dom().contains(
            variant_path(
                item_name(item_at(items, i)),
                ident_text(#[trigger] item_at(items, i)->DeclEnumNode_0.branches@[k].1.1.name),
            ),
        )
    &&& forall|i: int|
        0 <= i < items.len() && #[trigger] item_at(items, i) is DeclFunctionNode ==> {
            &&& s.names().dom().contains(item_name(item_at(items, i)))
            &&& s.types()[s.names()[item_name(item_at(items, i))].0 as int] is Function
        }
}


/// A branch that the scan binds without error.
pub open spec fn branch_supported(items: Seq<WithId<Spanned<ItemNode>>>, b: crate::ast::EnumBranchNode) -> bool {
    match b.fields {
        None => true,
        Some(f) => match f.1.1 {
            FieldsNode::Unnamed(tys) => forall|q: int| 0 <= q < tys@.len() ==> resolvable_field(items, #[trigger] tys@[q].1.1),
            FieldsNode::Named(_) => false,
        },
    }
}

/// What holds while the variant constructors are bound, after `t` enums are done.
spec fn variants_state(
    items: Seq<WithId<Spanned<ItemNode>>>,
    tags: Seq<(usize, Vec<SimpleTypeRef>)>,
    scope: Scope,
    t: int,
) -> bool {
    &&& !has_conflict(items)
    &&& scope.wf()
    &&& scope.names().dom().contains(int_name())
    &&& forall|j: int| 0 <= j < items.len() && #[trigger] item_at(items, j) is DeclEnumNode ==> scope.names().dom().contains(
        item_name(item_at(items, j)),
    )
    &&& forall|u: int| 0 <= u < tags.len() ==> {
        let e = #[trigger] tags[u];
        &&& e.0 < items.len()
        &&& item_at(items, e.0 as int) is DeclEnumNode
        &&& e.1@.len() == item_at(items, e.0 as int)->DeclEnumNode_0.branches@.len()
    }
    &&& forall|u: int, k: int| 0 <= u < tags.len() && 0 <= k < tags[u].1@.len() ==> (#[trigger] tags[u].1@[k]).0 < scope.types().len()
    &&& forall|j: int| 0 <= j < items.len() && #[trigger] item_at(items, j) is DeclEnumNode ==> exists|u: int|
        0 <= u < tags.len() && (#[trigger] tags[u]).0 == j
    &&& forall|u: int, k: int|
        0 <= u < t && 0 <= k < item_at(items, (#[trigger] tags[u]).0 as int)->DeclEnumNode_0.branches@.len()
            ==> scope.names().dom().contains(
            variant_path(
                item_name(item_at(items, tags[u].0 as int)),
                ident_text(#[trigger] item_at(items, tags[u].0 as int)->DeclEnumNode_0.branches@[k].1.1.name),
            ),
        )
}

proof fn lemma_variants_state_grows(
    items: Seq<WithId<Spanned<ItemNode>>>,
    tags: Seq<(usize, Vec<SimpleTypeRef>)>,
    types0: Seq<TypeModel>,
    names0: Map<Seq<char>, SimpleTypeRef>,
    scope: Scope,
    t: int,
)
    requires
        !has_conflict(items),
        names0.dom().contains(int_name()),
        forall|j: int| 0 <= j < items.len() && #[trigger] item_at(items, j) is DeclEnumNode ==> names0.dom().contains(
            item_name(item_at(items, j)),
        ),
        forall|u: int| 0 <= u < tags.len() ==> {
            let e = #[trigger] tags[u];
            &&& e.0 < items.len()
            &&& item_at(items, e.0 as int) is DeclEnumNode
            &&& e.1@.len() == item_at(items, e.0 as int)->DeclEnumNode_0.branches@.len()
        },
        forall|u: int, k: int| 0 <= u < tags.len() && 0 <= k < tags[u].1@.len() ==> (#[trigger] tags[u].1@[k]).0 < types0.len(),
        forall|j: int| 0 <= j < items.len() && #[trigger] item_at(items, j) is DeclEnumNode ==> exists|u: int|
            0 <= u < tags.len() && (#[trigger] tags[u]).0 == j,
        forall|u: int, k: int|
            0 <= u < t && 0 <= k < item_at(items, (#[trigger] tags[u]).0 as int)->DeclEnumNode_0.branches@.len()
                ==> names0.dom().contains(
                variant_path(
                    item_name(item_at(items, tags[u].0 as int)),
                    ident_text(#[trigger] item_at(items, tags[u].0 as int)->DeclEnumNode_0.branches@[k].1.1.name),
                ),
            ),
        scope.wf(),
        scope.types().len() >= types0.len(),
        forall|k: Seq<char>| names0.dom().contains(k) ==> #[trigger] scope.names().dom().contains(k),
    ensures
        variants_state(items, tags, scope, t),
{
}

/// The store and the environment while scanning.
pub type ScanState = (Seq<TypeModel>, Map<Seq<char>, SimpleTypeRef>);

/// A fresh scope with `Int` bound to the primitive `Int`.
pub open spec fn initial_scan_state() -> ScanState {
    (
        seq![TypeModel::Primitive(crate::ty::unit_name()), TypeModel::Primitive(int_name())],
        Map::<Seq<char>, SimpleTypeRef>::empty().insert(int_name(), SimpleTypeRef(1)),
    )
}

/// Stores one tag per branch from `k` on, each below the enum variable at `enum_ref`
/// (put in front of its lower bounds); `tags` collects the tags' indices.
pub open spec fn tags_model(
    ts: Seq<TypeModel>,
    enum_ref: usize,
    root: Seq<char>,
    bs: Seq<WithId<Spanned<EnumBranchNode>>>,
    k: int,
    tags: Seq<SimpleTypeRef>,
) -> (Seq<TypeModel>, Seq<SimpleTypeRef>)
    decreases bs.len() - k,
{
    if k < 0 || k >= bs.len() {
        (ts, tags)
    } else {
        let tag = SimpleTypeRef(ts.len() as usize);
        let ts1 = ts.push(TypeModel::VariantTag { root, variant: ident_text(bs[k].1.1.name) });
        let ev = ts1[enum_ref as int];
        let ts2 = ts1.update(
            enum_ref as int,
            TypeModel::Variable { lower: seq![tag] + ev->Variable_lower, upper: ev->Variable_upper },
        );
        tags_model(ts2, enum_ref, root, bs, k + 1, tags.push(tag))
    }
}

/// The first pass from item `i` on: refuses a name declared twice where an enum is
/// involved, and declares each enum as a variable with its tags below it. `recs` lists
/// each enum's item index and the indices of its tags.
pub open spec fn declare_model(
    items: Seq<WithId<Spanned<ItemNode>>>,
    i: int,
    st: ScanState,
    recs: Seq<(usize, Seq<SimpleTypeRef>)>,
) -> Result<(ScanState, Seq<(usize, Seq<SimpleTypeRef>)>), Seq<char>>
    decreases items.len() - i,
{
    if i < 0 || i >= items.len() {
        Ok((st, recs))
    } else {
        match item_at(items, i) {
            ItemNode::DeclEnumNode(e) => if exists|j: int|
                0 <= j < i && item_name(#[trigger] item_at(items, j)) == item_name(item_at(items, i)) {
                Err(duplicate_message(item_name(item_at(items, i))))
            } else {
                let r = SimpleTypeRef(st.0.len() as usize);
                let t = tags_model(st.0.push(fresh_variable()), r.0, ident_text(e.name), e.branches@, 0, seq![]);
                declare_model(items, i + 1, (t.0, st.1.insert(ident_text(e.name), r)), recs.push((i as usize, t.1)))
            },
            ItemNode::DeclFunctionNode(_) => if exists|j: int|
                0 <= j < i && item_name(#[trigger] item_at(items, j)) == item_name(item_at(items, i)) && item_at(
                    items,
                    j,
                ) is DeclEnumNode {
                Err(duplicate_message(item_name(item_at(items, i))))
            } else {
                declare_model(items, i + 1, st, recs)
            },
        }
    }
}

/// Lowers the field types from index `m` on, in the environment `names`.
pub open spec fn lower_all(
    names: Map<Seq<char>, SimpleTypeRef>,
    tys: Seq<WithId<Spanned<TypeNode>>>,
    m: int,
    acc: Seq<SimpleTypeRef>,
) -> Result<Seq<SimpleTypeRef>, Seq<char>>
    decreases tys.len() - m,
{
    if m < 0 || m >= tys.len() {
        Ok(acc)
    } else {
        match crate::syntax::lowered(names, tys[m].1.1) {
            Err(msg) => Err(msg),
            Ok(t) => lower_all(names, tys, m + 1, acc.push(t)),
        }
    }
}

/// Binds the qualified name of one branch whose tag is `tag`: the tag itself without
/// fields, a constructor from the lowered field types to the tag with positional fields.
pub open spec fn branch_model(st: ScanState, root: Seq<char>, b: EnumBranchNode, tag: SimpleTypeRef) -> Result<ScanState, Seq<char>> {
    let path = variant_path(root, ident_text(b.name));
    match b.fields {
        None => Ok((st.0, st.1.insert(path, tag))),
        Some(f) => match f.1.1 {
            FieldsNode::Unnamed(tys) => match lower_all(st.1, tys@, 0, seq![]) {
                Err(m) => Err(m),
                Ok(args) => Ok((st.0.push(TypeModel::Function(args, tag)), st.1.insert(path, SimpleTypeRef(st.0.len() as usize)))),
            },
            FieldsNode::Named(_) => Err(named_fields_message()),
        },
    }
}

/// The second pass: the branches of the enums of `recs`, from enum `t` and branch `k` on.
pub open spec fn constructors_model(
    items: Seq<WithId<Spanned<ItemNode>>>,
    recs: Seq<(usize, Seq<SimpleTypeRef>)>,
    t: int,
    k: int,
    st: ScanState,
) -> Result<ScanState, Seq<char>>
    decreases recs.len() - t, item_at(items, recs[t].0 as int)->DeclEnumNode_0.branches@.len() - k,
{
    if t < 0 || t >= recs.len() {
        Ok(st)
    } else {
        let e = item_at(items, recs[t].0 as int)->DeclEnumNode_0;
        if k < 0 || k >= e.branches@.len() {
            constructors_model(items, recs, t + 1, 0, st)
        } else {
            match branch_model(st, ident_text(e.name), e.branches@[k].1.1, recs[t].1[k]) {
                Err(m) => Err(m),
                Ok(st2) => constructors_model(items, recs, t, k + 1, st2),
            }
        }
    }
}

/// The index of the first core definition of `name` from item `i` on (the length if none).
pub open spec fn first_core(items: Seq<WithId<Spanned<ItemNode>>>, name: Seq<char>, i: int) -> int
    decreases items.len() - i,
{
    if i < 0 || i >= items.len() {
        items.len() as int
    } else if item_at(items, i) is DeclFunctionNode && item_name(item_at(items, i)) == name && is_core(
        item_at(items, i)->DeclFunctionNode_0,
    ) {
        i
    } else {
        first_core(items, name, i + 1)
    }
}

/// Declares a function name as a function of `arity` fresh argument variables to a fresh
/// result variable.
pub open spec fn function_type_model(st: ScanState, name: Seq<char>, arity: nat) -> ScanState {
    let base = st.0.len();
    let ts1 = st.0 + Seq::new(arity + 1, |k: int| fresh_variable());
    let ts2 = ts1.push(
        TypeModel::Function(Seq::new(arity, |k: int| SimpleTypeRef((base + k) as usize)), SimpleTypeRef((base + arity) as usize)),
    );
    (ts2, st.1.insert(name, SimpleTypeRef((base + arity + 1) as usize)))
}

/// The third pass from item `i` on: each function name, at its first declaration, needs
/// exactly one core definition and is declared through it.
pub open spec fn functions_model(items: Seq<WithId<Spanned<ItemNode>>>, i: int, st: ScanState) -> Result<ScanState, Seq<char>>
    decreases items.len() - i,
{
    if i < 0 || i >= items.len() {
        Ok(st)
    } else if item_at(items, i) is DeclFunctionNode && !exists|j: int|
        0 <= j < i && item_name(#[trigger] item_at(items, j)) == item_name(item_at(items, i)) {
        let name = item_name(item_at(items, i));
        let count = core_count(items, name, items.len() as int);
        if count == 0 {
            Err(no_core_message(name))
        } else if count >= 2 {
            Err(multiple_core_message(name))
        } else {
            let arity = item_at(items, first_core(items, name, 0))->DeclFunctionNode_0.parameters@.len();
            functions_model(items, i + 1, function_type_model(st, name, arity))
        }
    } else {
        functions_model(items, i + 1, st)
    }
}

/// The rest of a scan once the constructors are bound (or failed to be).
pub open spec fn after_constructors(items: Seq<WithId<Spanned<ItemNode>>>, c: Result<ScanState, Seq<char>>) -> Result<ScanState, Seq<char>> {
    match c {
        Err(m) => Err(m),
        Ok(st) => functions_model(items, 0, st),
    }
}

/// What a scan does: the final store and environment, or the error message.
pub open spec fn scan_model(items: Seq<WithId<Spanned<ItemNode>>>) -> Result<ScanState, Seq<char>> {
    match declare_model(items, 0, initial_scan_state(), seq![]) {
        Err(m) => Err(m),
        Ok(a) => match constructors_model(items, a.1, 0, 0, a.0) {
            Err(m) => Err(m),
            Ok(st) => functions_model(items, 0, st),
        },
    }
}

/// `b` is the first item that collides with an earlier one.
pub open spec fn first_collision(items: Seq<WithId<Spanned<ItemNode>>>, b: int) -> bool {
    &&& exists|a: int| conflicting(items, a, b)
    &&& forall|a: int, c: int| 0 <= a < c < b ==> !conflicting(items, a, c)
}

fn message_around(before: &str, name: &String, after: &str) -> (r: String)
    ensures
        r@ == before@ + name@ + after@,
{
    let mut s = String::new();
    s.append(before);
    s.append(name.as_str());
    s.append(after);
    assert(s@ =~= before@ + name@ + after@);
    s
}

fn same_name_before(items: &[WithId<Spanned<ItemNode>>], i: usize, enums_only: bool) -> (r: bool)
    requires
        i < items@.len(),
    ensures
        r == exists|j: int|
            0 <= j < i && item_name(#[trigger] item_at(items@, j)) == item_name(item_at(items@, i as int)) && (!enums_only
                || item_at(items@, j) is DeclEnumNode),
{
    let name = items[i].1.1.representative_name();
    let mut j: usize = 0;
    while j < i
        invariant
            i < items@.len(),
            j <= i,
            name@ == item_name(item_at(items@, i as int)),
            forall|m: int|
                0 <= m < j ==> !(item_name(#[trigger] item_at(items@, m)) == name@ && (!enums_only
                    || item_at(items@, m) is DeclEnumNode)),
        decreases i - j,
    {
        let other = items[j].1.1.representative_name();
        let is_enum = match &items[j].1.1 {
            ItemNode::DeclEnumNode(_) => true,
            _ => false,
        };
        if other == name && (!enums_only || is_enum) {
            assert(item_at(items@, j as int) == items@[j as int].1.1);
            return true;
        }
        j = j + 1;
    }
    false
}


/// The messages that a scan can fail with: the collision of the first item that collides,
/// or, without a collision, a field or core-definition error.
pub open spec fn scan_error(items: Seq<WithId<Spanned<ItemNode>>>, m: Seq<char>) -> bool {
    ||| has_conflict(items) && exists|b: int|
        first_collision(items, b) && m == duplicate_message(item_name(#[trigger] item_at(items, b)))
    ||| !has_conflict(items) && {
        ||| m == named_fields_message()
        ||| m == crate::syntax::path_message()
        ||| m == crate::syntax::tuple_message()
        ||| exists|i: int|
            0 <= i < items.len() && #[trigger] item_at(items, i) is DeclFunctionNode && (m == no_core_message(
                item_name(item_at(items, i)),
            ) || m == multiple_core_message(item_name(item_at(items, i))))
    }
}

/// The view of the enum records of the first pass.
pub open spec fn recs_view(v: Seq<(usize, Vec<SimpleTypeRef>)>) -> Seq<(usize, Seq<SimpleTypeRef>)> {
    v.map_values(|e: (usize, Vec<SimpleTypeRef>)| (e.0, e.1@))
}

fn count_cores(items: &[WithId<Spanned<ItemNode>>], name: &String) -> (r: (usize, usize))
    ensures
        r.0 == core_count(items@, name@, items@.len() as int),
        r.0 >= 1 ==> {
            &&& r.1 < items@.len()
            &&& item_at(items@, r.1 as int) is DeclFunctionNode
            &&& is_core(item_at(items@, r.1 as int)->DeclFunctionNode_0)
            &&& r.1 == first_core(items@, name@, 0)
        },
{
    let mut count: usize = 0;
    let mut first: usize = 0;
    let mut i: usize = 0;
    while i < items.len()
        invariant
            i <= items@.len(),
            count == core_count(items@, name@, i as int),
            count <= i,
            count >= 1 ==> {
                &&& first < items@.len()
                &&& item_at(items@, first as int) is DeclFunctionNode
                &&& is_core(item_at(items@, first as int)->DeclFunctionNode_0)
                &&& first == first_core(items@, name@, 0)
            },
            count == 0 ==> first_core(items@, name@, 0) == first_core(items@, name@, i as int),
        decreases items@.len() - i,
    {
        assert(item_at(items@, i as int) == items@[i as int].1.1);
        match &items[i].1.1 {
            ItemNode::DeclFunctionNode(f) => {
                let mut core = true;
                let mut k: usize = 0;
                while k < f.parameters.len()
                    invariant
                        k <= f.parameters@.len(),
                        core == forall|m: int| 0 <= m < k ==> (#[trigger] f.parameters@[m]).1.1.ty is Some,
                    decreases f.parameters@.len() - k,
                {
                    if f.parameters[k].1.1.ty.is_none() {
                        core = false;
                    }
                    k = k + 1;
                }
                if core && f.name.1.1.0.content == *name {
                    if count == 0 {
                        first = i;
                    }
                    count = count + 1;
                }
            },
            _ => {},
        }
        i = i + 1;
    }
    (count, first)
}

/// Declares every top-level item before inference: each enum as a variable with its
/// variant tags below it, each variant under `Enum.variant` (the tag itself, or a
/// constructor function for positional fields), and each function name, through its one
/// core definition, as a function of fresh variables. `Int` is bound to the primitive `Int`.
pub fn scan(items: &[WithId<Spanned<ItemNode>>]) -> (r: Result<Scope, InferError>)
    ensures
        r is Ok ==> scanned(items@, r->Ok_0),
        r is Ok ==> scan_model(items@) == Ok::<ScanState, Seq<char>>((r->Ok_0.types(), r->Ok_0.names())),
        r is Err ==> scan_model(items@) == Err::<ScanState, Seq<char>>(r->Err_0.message@),
        r is Err ==> scan_error(items@, r->Err_0.message@),
        has_conflict(items@) ==> r is Err && exists|b: int|
            first_collision(items@, b) && r->Err_0.message@ == duplicate_message(item_name(#[trigger] item_at(items@, b))),
        !has_conflict(items@) && fields_supported(items@) && cores_unique(items@) ==> r is Ok,
        !has_conflict(items@) && fields_supported(items@) && !cores_unique(items@) ==> r is Err,
{
    let mut scope = Scope::new();
    let int_text = String::from_str("Int");
    proof {
        reveal_strlit("Int");
        assert(int_text@ =~= int_name());
    }
    scope.assign(&int_text, SimpleType::Primitive(String::from_str("Int")));
    proof {
        assert(scope.types() =~= initial_scan_state().0);
        assert(scope.names() =~= initial_scan_state().1);
    }

    // declare the enums and their tags, and refuse names declared twice
    let mut enum_tags: Vec<(usize, Vec<SimpleTypeRef>)> = Vec::new();
    assert(recs_view(enum_tags@) =~= seq![]);
    let mut i: usize = 0;
    while i < items.len()
        invariant
            i <= items@.len(),
            scope.wf(),
            scope.names().dom().contains(int_name()),
            forall|a: int, b: int| 0 <= a < b < i ==> !conflicting(items@, a, b),
            declare_model(items@, 0, initial_scan_state(), seq![]) == declare_model(
                items@,
                i as int,
                (scope.types(), scope.names()),
                recs_view(enum_tags@),
            ),
            forall|j: int| 0 <= j < i && #[trigger] item_at(items@, j) is DeclEnumNode ==> scope.names().dom().contains(
                item_name(item_at(items@, j)),
            ),
            forall|t: int| 0 <= t < enum_tags@.len() ==> {
                let e = #[trigger] enum_tags@[t];
                &&& e.0 < i
                &&& item_at(items@, e.0 as int) is DeclEnumNode
                &&& e.1@.len() == item_at(items@, e.0 as int)->DeclEnumNode_0.branches@.len()
                &&& forall|k: int| 0 <= k < e.1@.len() ==> (#[trigger] e.1@[k]).0 < scope.types().len()
            },
            forall|j: int| 0 <= j < i && #[trigger] item_at(items@, j) is DeclEnumNode ==> exists|t: int|
                0 <= t < enum_tags@.len() && (#[trigger] enum_tags@[t]).0 == j,
        decreases items@.len() - i,
    {
        assert(item_at(items@, i as int) == items@[i as int].1.1);
        match &items[i].1.1 {
            ItemNode::DeclEnumNode(e) => {
                if same_name_before(items, i, false) {
                    let message = message_around("Item \"", &e.name.1.1.0.content, "\" declared multiple times");
                    proof {
                        let j = choose|j: int| 0 <= j < i && item_name(#[trigger] item_at(items@, j)) == item_name(item_at(items@, i as int));
                        assert(conflicting(items@, j, i as int));
                        assert(first_collision(items@, i as int));
                        assert(message@ =~= duplicate_message(item_name(item_at(items@, i as int))));
                    }
                    return Err(InferError::new(message));
                }
                let ghost st_before = (scope.types(), scope.names());
                let ghost recs_before = recs_view(enum_tags@);
                let enum_ty = scope.assign(&e.name.1.1.0.content, SimpleType::variable());
                let ghost names_after = scope.names();
                let ghost types_after = scope.types();
                let mut tags: Vec<SimpleTypeRef> = Vec::new();
                assert(tags@ =~= seq![]);
                let mut k: usize = 0;
                while k < e.branches.len()
                    invariant
                        k <= e.branches@.len(),
                        tags_model(types_after, enum_ty.0, ident_text(e.name), e.branches@, 0, seq![]) == tags_model(
                            scope.types(),
                            enum_ty.0,
                            ident_text(e.name),
                            e.branches@,
                            k as int,
                            tags@,
                        ),
                        scope.wf(),
                        scope.names() == names_after,
                        enum_ty.0 < scope.types().len(),
                        scope.types()[enum_ty.0 as int] is Variable,
                        scope.types()[enum_ty.0 as int]->Variable_upper.len() == 0,
                        tags@.len() == k,
                        forall|m: int| 0 <= m < k ==> (#[trigger] tags@[m]).0 < scope.types().len(),
                        forall|t: int| 0 <= t < enum_tags@.len() ==> forall|m: int|
                            0 <= m < (#[trigger] enum_tags@[t]).1@.len() ==> (#[trigger] enum_tags@[t].1@[m]).0
                                < scope.types().len(),
                    decreases e.branches@.len() - k,
                {
                    let root = copy_identifier(&e.name);
                    let variant = copy_identifier(&e.branches[k].1.1.name);
                    let tag = scope.put(SimpleType::VariantTag { root, variant });
                    // the size of the store fits in usize
                    let _len = scope.len();
                    let ghost ts = scope.types();
                    proof {
                        let step = crate::constrain::constrain_step(ts, tag.0, enum_ty.0);
                        assert(step is Some);
                        assert(step->Some_0.1 =~= Seq::<(usize, usize)>::empty());
                        assert(!seq![].contains((tag.0, enum_ty.0)));
                    }
                    let res = constrain(&mut scope, tag, enum_ty);
                    assert(res is Ok);
                    proof {
                        let ev = ts[enum_ty.0 as int];
                        assert(scope.types() == ts.update(
                            enum_ty.0 as int,
                            TypeModel::Variable { lower: seq![tag] + ev->Variable_lower, upper: ev->Variable_upper },
                        ));
                    }
                    let ghost tags_before = tags@;
                    tags.push(tag);
                    assert(tags@ == tags_before.push(tag));
                    k = k + 1;
                }
                let ghost old_tags = enum_tags@;
                let ghost tags_seq = tags@;
                enum_tags.push((i, tags));
                proof {
                    assert(recs_view(enum_tags@) =~= recs_before.push((i, tags_seq)));
                    assert(item_name(item_at(items@, i as int)) == ident_text(e.name));
                    assert forall|j: int| 0 <= j < i + 1 && #[trigger] item_at(items@, j) is DeclEnumNode implies exists|t: int|
                        0 <= t < enum_tags@.len() && (#[trigger] enum_tags@[t]).0 == j by {
                        if j < i {
                            let t = choose|t: int| 0 <= t < old_tags.len() && (#[trigger] old_tags[t]).0 == j;
                            assert(enum_tags@[t] == old_tags[t]);
                        } else {
                            assert(enum_tags@[enum_tags@.len() - 1].0 == j);
                        }
                    }
                    assert forall|a: int, b: int| 0 <= a < b < i + 1 implies !conflicting(items@, a, b) by {
                        if b == i && conflicting(items@, a, b) {
                            assert(item_name(item_at(items@, a)) == item_name(item_at(items@, i as int)));
                        }
                    }
                }
            },
            ItemNode::DeclFunctionNode(f) => {
                if same_name_before(items, i, true) {
                    let message = message_around("Item \"", &f.name.1.1.0.content, "\" declared multiple times");
                    proof {
                        let j = choose|j: int| 0 <= j < i && item_name(#[trigger] item_at(items@, j)) == item_name(item_at(items@, i as int)) && item_at(items@, j) is DeclEnumNode;
                        assert(conflicting(items@, j, i as int));
                        assert(first_collision(items@, i as int));
                        assert(message@ =~= duplicate_message(item_name(item_at(items@, i as int))));
                    }
                    return Err(InferError::new(message));
                }
                proof {
                    assert forall|a: int, b: int| 0 <= a < b < i + 1 implies !conflicting(items@, a, b) by {
                        if b == i && conflicting(items@, a, b) {
                            assert(item_at(items@, a) is DeclEnumNode);
                        }
                    }
                }
            },
        }
        i = i + 1;
    }
    proof {
        assert(!has_conflict(items@));
    }
    let ghost tags_view = enum_tags@;
    let ghost recs_a = recs_view(enum_tags@);
    let ghost st_a = (scope.types(), scope.names());
    assert(scan_model(items@) == after_constructors(items@, constructors_model(items@, recs_a, 0, 0, st_a)));
    assert(variants_state(items@, tags_view, scope, 0));

    // bind the variant constructors
    let mut t: usize = 0;
    while t < enum_tags.len()
        invariant
            t <= enum_tags@.len(),
            enum_tags@ == tags_view,
            recs_a == recs_view(tags_view),
            scan_model(items@) == after_constructors(
                items@,
                constructors_model(items@, recs_a, t as int, 0, (scope.types(), scope.names())),
            ),
            variants_state(items@, tags_view, scope, t as int),
        decreases enum_tags@.len() - t,
    {
        let idx = enum_tags[t].0;
        assert(item_at(items@, idx as int) == items@[idx as int].1.1);
        match &items[idx].1.1 {
            ItemNode::DeclEnumNode(e) => {
                proof {
                    if fields_supported(items@) {
                        assert forall|m: int| 0 <= m < e.branches@.len() implies branch_supported(items@, #[trigger] e.branches@[m].1.1) by {
                            assert(item_at(items@, idx as int)->DeclEnumNode_0.branches@[m] == e.branches@[m]);
                        }
                    }
                }
                let mut k: usize = 0;
                while k < e.branches.len()
                    invariant
                        k <= e.branches@.len(),
                        t < enum_tags@.len(),
                        enum_tags@ == tags_view,
                        idx == tags_view[t as int].0,
                        item_at(items@, idx as int) == ItemNode::DeclEnumNode(*e),
                        recs_a == recs_view(tags_view),
                        scan_model(items@) == after_constructors(
                            items@,
                            constructors_model(items@, recs_a, t as int, k as int, (scope.types(), scope.names())),
                        ),
                        tags_view[t as int].1@.len() == e.branches@.len(),
                        variants_state(items@, tags_view, scope, t as int),
                        forall|m: int| 0 <= m < k ==> scope.names().dom().contains(
                            variant_path(ident_text(e.name), ident_text(#[trigger] e.branches@[m].1.1.name)),
                        ),
                        fields_supported(items@) ==> forall|m: int| 0 <= m < e.branches@.len() ==> branch_supported(items@, #[trigger] e.branches@[m].1.1),
                    decreases e.branches@.len() - k,
                {
                    let branch = &e.branches[k].1.1;
                    let mut full = e.name.1.1.0.content.clone();
                    full.append(".");
                    full.append(branch.name.1.1.0.content.as_str());
                    proof {
                        assert(full@ =~= variant_path(ident_text(e.name), ident_text(e.branches@[k as int].1.1.name)));
                    }
                    let tag = enum_tags[t].1[k];
                    assert(tag.0 < scope.types().len());
                    assert(tag == recs_a[t as int].1[k as int]);
                    let ghost names0 = scope.names();
                    let ghost types0 = scope.types();
                    match &branch.fields {
                        None => {
                            scope.assign_alias(&full, tag);
                        },
                        Some(fields) => match &fields.1.1 {
                            FieldsNode::Unnamed(tys) => {
                                let mut args: Vec<SimpleTypeRef> = Vec::new();
                                assert(args@ =~= seq![]);
                                let mut m: usize = 0;
                                while m < tys.len()
                                    invariant
                                        m <= tys@.len(),
                                        lower_all(names0, tys@, 0, seq![]) == lower_all(names0, tys@, m as int, args@),
                                        scan_model(items@) == after_constructors(
                                            items@,
                                            constructors_model(items@, recs_a, t as int, k as int, (types0, names0)),
                                        ),
                                        e.branches@[k as int].1.1.fields == Some(*fields),
                                        fields.1.1 == FieldsNode::Unnamed(*tys),
                                        t < tags_view.len(),
                                        recs_a == recs_view(tags_view),
                                        k < e.branches@.len(),
                                        idx == tags_view[t as int].0,
                                        item_at(items@, idx as int) == ItemNode::DeclEnumNode(*e),
                                        tag == recs_a[t as int].1[k as int],
                                        full@ == variant_path(ident_text(e.name), ident_text(e.branches@[k as int].1.1.name)),
                                        scope.names() == names0,
                                        scope.types() == types0,
                                        variants_state(items@, tags_view, scope, t as int),
                                        args@.len() == m,
                                        forall|q: int| 0 <= q < m ==> (#[trigger] args@[q]).0 < scope.types().len(),
                                        fields_supported(items@) ==> forall|q: int|
                                            0 <= q < tys@.len() ==> resolvable_field(items@, #[trigger] tys@[q].1.1),
                                    decreases tys@.len() - m,
                                {
                                    let lowered = transform_syntax_type(&mut scope, &tys[m].1.1);
                                    let ghost acc = args@;
                                    match lowered {
                                        Ok(a) => {
                                            args.push(a);
                                            assert(args@ == acc.push(a));
                                        },
                                        Err(err) => {
                                            proof {
                                                if fields_supported(items@) {
                                                    assert(resolvable_field(items@, tys@[m as int].1.1));
                                                    let p = tys@[m as int].1.1->Path_0;
                                                    if joined_path(p.0@) != int_name() {
                                                        let j = choose|j: int| 0 <= j < items@.len() && #[trigger] item_at(items@, j) is DeclEnumNode
                                                            && item_name(item_at(items@, j)) == joined_path(p.0@);
                                                        assert(scope.names().dom().contains(item_name(item_at(items@, j))));
                                                    }
                                                }
                                            }
                                            return Err(err);
                                        },
                                    }
                                    m = m + 1;
                                }
                                scope.assign(&full, SimpleType::Function(args, tag));
                            },
                            FieldsNode::Named(_) => {
                                proof {
                                    if fields_supported(items@) {
                                        assert(branch_supported(items@, e.branches@[k as int].1.1));
                                    }
                                }
                                let message = String::from_str("enum variant with named fields is not supported yet");
                                return Err(InferError::new(message));
                            },
                        },
                    }
                    proof {
                        assert(scope.names() == names0.insert(full@, scope.names()[full@]));
                        lemma_variants_state_grows(items@, tags_view, types0, names0, scope, t as int);
                    }
                    k = k + 1;
                }
                proof {
                    assert forall|u: int, m: int|
                        0 <= u < t + 1 && 0 <= m < item_at(items@, (#[trigger] tags_view[u]).0 as int)->DeclEnumNode_0.branches@.len()
                            implies scope.names().dom().contains(
                            variant_path(
                                item_name(item_at(items@, tags_view[u].0 as int)),
                                ident_text(#[trigger] item_at(items@, tags_view[u].0 as int)->DeclEnumNode_0.branches@[m].1.1.name),
                            ),
                        ) by {
                        if u == t {
                            assert(e.branches@[m] == item_at(items@, tags_view[u].0 as int)->DeclEnumNode_0.branches@[m]);
                        }
                    }
                }
            },
            _ => {},
        }
        t = t + 1;
    }

    // declare each function name through its one core definition
    assert(scan_model(items@) == functions_model(items@, 0, (scope.types(), scope.names())));
    let mut i: usize = 0;
    while i < items.len()
        invariant
            i <= items@.len(),
            scan_model(items@) == functions_model(items@, i as int, (scope.types(), scope.names())),
            !has_conflict(items@),
            scope.wf(),
            scope.names().dom().contains(int_name()),
            forall|j: int| 0 <= j < items@.len() && #[trigger] item_at(items@, j) is DeclEnumNode ==> scope.names().dom().contains(
                item_name(item_at(items@, j)),
            ),
            forall|u: int, k: int|
                0 <= u < enum_tags@.len() && 0 <= k < item_at(items@, (#[trigger] enum_tags@[u]).0 as int)->DeclEnumNode_0.branches@.len()
                    ==> scope.names().dom().contains(
                    variant_path(
                        item_name(item_at(items@, enum_tags@[u].0 as int)),
                        ident_text(#[trigger] item_at(items@, enum_tags@[u].0 as int)->DeclEnumNode_0.branches@[k].1.1.name),
                    ),
                ),
            forall|j: int| 0 <= j < items@.len() && #[trigger] item_at(items@, j) is DeclEnumNode ==> exists|u: int|
                0 <= u < enum_tags@.len() && (#[trigger] enum_tags@[u]).0 == j,
            forall|j: int| 0 <= j < i && #[trigger] item_at(items@, j) is DeclFunctionNode ==> {
                &&& scope.names().dom().contains(item_name(item_at(items@, j)))
                &&& scope.types()[scope.names()[item_name(item_at(items@, j))].0 as int] is Function
            },
            forall|j: int| 0 <= j < i && #[trigger] item_at(items@, j) is DeclFunctionNode ==> core_count(
                items@,
                item_name(item_at(items@, j)),
                items@.len() as int,
            ) == 1,
        decreases items@.len() - i,
    {
        assert(item_at(items@, i as int) == items@[i as int].1.1);
        match &items[i].1.1 {
            ItemNode::DeclFunctionNode(f) => {
                let name = &f.name.1.1.0.content;
                if !same_name_before(items, i, false) {
                    let (count, core_index) = count_cores(items, name);
                    if count == 0 {
                        let message = message_around("Function \"", name, "\" has no core definition");
                        return Err(InferError::new(message));
                    }
                    if count >= 2 {
                        let message = message_around("Function \"", name, "\" has multiple core definition");
                        return Err(InferError::new(message));
                    }
                    assert(item_at(items@, core_index as int) == items@[core_index as int].1.1);
                    let arity = match &items[core_index].1.1 {
                        ItemNode::DeclFunctionNode(core) => core.parameters.len(),
                        _ => 0,
                    };
                    let ghost names_c = scope.names();
                    let ghost types_c = scope.types();
                    proof {
                        assert(item_name(item_at(items@, i as int)) == name@);
                        assert(!exists|j: int| 0 <= j < i && item_name(#[trigger] item_at(items@, j)) == item_name(item_at(items@, i as int)));
                        assert(functions_model(items@, i as int, (types_c, names_c)) == functions_model(
                            items@,
                            i + 1,
                            function_type_model((types_c, names_c), name@, arity as nat),
                        ));
                    }
                    let mut params: Vec<SimpleTypeRef> = Vec::new();
                    assert(scope.types() =~= types_c + Seq::new(0, |k: int| fresh_variable()));
                    assert(params@ =~= Seq::new(0, |k: int| SimpleTypeRef((types_c.len() + k) as usize)));
                    let mut m: usize = 0;
                    while m < arity
                        invariant
                            m <= arity,
                            scope.types() == types_c + Seq::new(m as nat, |k: int| fresh_variable()),
                            params@ == Seq::new(m as nat, |k: int| SimpleTypeRef((types_c.len() + k) as usize)),
                            scan_model(items@) == functions_model(
                                items@,
                                i + 1,
                                function_type_model((types_c, names_c), name@, arity as nat),
                            ),
                            scope.wf(),
                            params@.len() == m,
                            forall|q: int| 0 <= q < m ==> (#[trigger] params@[q]).0 < scope.types().len(),
                            scope.names() == names_c,
                            scope.types().len() >= types_c.len(),
                            forall|q: int| 0 <= q < types_c.len() ==> #[trigger] scope.types()[q] == types_c[q],
                        decreases arity - m,
                    {
                        let ghost before = scope.types();
                        let ghost ps = params@;
                        let v = scope.put(SimpleType::variable());
                        params.push(v);
                        m = m + 1;
                        assert(scope.types() =~= types_c + Seq::new(m as nat, |k: int| fresh_variable()));
                        assert(params@ =~= Seq::new(m as nat, |k: int| SimpleTypeRef((types_c.len() + k) as usize)));
                    }
                    let ret = scope.put(SimpleType::variable());
                    assert(scope.types() =~= types_c + Seq::new(arity as nat + 1, |k: int| fresh_variable()));
                    let ghost ps = params@;
                    let fn_ref = scope.assign(name, SimpleType::Function(params, ret));
                    proof {
                        let f = function_type_model((types_c, names_c), name@, arity as nat);
                        assert(ps =~= Seq::new(arity as nat, |k: int| SimpleTypeRef((types_c.len() + k) as usize)));
                        assert(scope.types() =~= f.0);
                        assert(scope.names() =~= f.1);
                    }
                    proof {
                        assert forall|j: int| 0 <= j < i + 1 && #[trigger] item_at(items@, j) is DeclFunctionNode implies {
                            &&& scope.names().dom().contains(item_name(item_at(items@, j)))
                            &&& scope.types()[scope.names()[item_name(item_at(items@, j))].0 as int] is Function
                        } by {
                            if item_name(item_at(items@, j)) != name@ {
                                let x = names_c[item_name(item_at(items@, j))];
                                assert(x.0 < types_c.len());
                                assert(scope.types()[x.0 as int] == types_c[x.0 as int]);
                            }
                        }
                    }
                } else {
                    proof {
                        let a = choose|a: int| 0 <= a < i && item_name(#[trigger] item_at(items@, a)) == item_name(item_at(items@, i as int));
                        if item_at(items@, a) is DeclEnumNode {
                            assert(conflicting(items@, a, i as int));
                        }
                        assert(core_count(items@, item_name(item_at(items@, a)), items@.len() as int) == 1);
                    }
                }
            },
            _ => {},
        }
        i = i + 1;
    }
    proof {
        assert forall|j: int, k: int|
            0 <= j < items@.len() && #[trigger] item_at(items@, j) is DeclEnumNode && 0 <= k
                < item_at(items@, j)->DeclEnumNode_0.branches@.len() implies scope.names().dom().contains(
                variant_path(
                    item_name(item_at(items@, j)),
                    ident_text(#[trigger] item_at(items@, j)->DeclEnumNode_0.branches@[k].1.1.name),
                ),
            ) by {
            let u = choose|u: int| 0 <= u < enum_tags@.len() && (#[trigger] enum_tags@[u]).0 == j;
            assert(item_at(items@, enum_tags@[u].0 as int)->DeclEnumNode_0.branches@[k] == item_at(items@, j)->DeclEnumNode_0.branches@[k]);
        }
    }
    Ok(scope)
}

} // verus!
