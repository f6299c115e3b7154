use crate::ast::{ident_text, IdentifierNode, WithId};
use crate::span::Spanned;
use vstd::prelude::*;

verus! {

/// A dense integer index into the type store of a [`crate::Scope`].
#[derive(Clone, Copy, Debug, Hash, PartialEq, Eq, Structural)]
pub struct SimpleTypeRef(pub usize);

impl SimpleTypeRef {
    /// The reserved index of the unit type.
    pub fn unit() -> (r: SimpleTypeRef)
        ensures
            r.0 == 0,
    {
        SimpleTypeRef(0)
    }
}

/// The bounds collected on a type variable, newest first.
#[derive(Clone, Debug, Hash, PartialEq, Eq)]
pub struct VariableState {
    pub lower_bounds: Vec<SimpleTypeRef>,
    pub upper_bounds: Vec<SimpleTypeRef>,
}

impl Default for VariableState {
    fn default() -> (r: VariableState)
        ensures
            r.lower_bounds@ == Seq::<SimpleTypeRef>::empty(),
            r.upper_bounds@ == Seq::<SimpleTypeRef>::empty(),
    {
        VariableState { lower_bounds: Vec::new(), upper_bounds: Vec::new() }
    }
}

/// An internal type whose leaves may be variables with bounds.
#[derive(Clone, Debug)]
pub enum SimpleType {
    Variable(VariableState),
    Primitive(String),
    Tuple(Vec<SimpleTypeRef>),
    VariantTag { root: WithId<Spanned<IdentifierNode>>, variant: WithId<Spanned<IdentifierNode>> },
    Function(Vec<SimpleTypeRef>, SimpleTypeRef),
}

/// What a [`SimpleType`] means: names as character sequences, references as sequences.
pub enum TypeModel {
    Variable { lower: Seq<SimpleTypeRef>, upper: Seq<SimpleTypeRef> },
    Primitive(Seq<char>),
    Tuple(Seq<SimpleTypeRef>),
    VariantTag { root: Seq<char>, variant: Seq<char> },
    Function(Seq<SimpleTypeRef>, SimpleTypeRef),
}

impl View for SimpleType {
    type V = TypeModel;

    open spec fn view(&self) -> TypeModel {
        match self {
            SimpleType::Variable(st) => TypeModel::Variable {
                lower: st.lower_bounds@,
                upper: st.upper_bounds@,
            },
            SimpleType::Primitive(name) => TypeModel::Primitive(name@),
            SimpleType::Tuple(elements) => TypeModel::Tuple(elements@),
            SimpleType::VariantTag { root, variant } => TypeModel::VariantTag {
                root: ident_text(*root),
                variant: ident_text(*variant),
            },
            SimpleType::Function(args, ret) => TypeModel::Function(args@, *ret),
        }
    }
}

impl SimpleType {
    /// A fresh variable: no bounds yet.
    pub fn variable() -> (r: SimpleType)
        ensures
            r@ == fresh_variable(),
    {
        SimpleType::Variable(VariableState::default())
    }
}

pub open spec fn fresh_variable() -> TypeModel {
    TypeModel::Variable { lower: Seq::empty(), upper: Seq::empty() }
}

pub open spec fn unit_name() -> Seq<char> {
    seq!['U', 'n', 'i', 't']
}

/// Every reference of the type that a cell holds, bounds included.
pub open spec fn children(t: TypeModel) -> Seq<SimpleTypeRef> {
    match t {
        TypeModel::Variable { lower, upper } => lower + upper,
        TypeModel::Tuple(elements) => elements,
        TypeModel::Function(args, ret) => args.push(ret),
        _ => Seq::empty(),
    }
}

pub open spec fn refs_below(s: Seq<SimpleTypeRef>, n: nat) -> bool {
    forall|i: int| 0 <= i < s.len() ==> (#[trigger] s[i]).0 < n
}

/// A well-formed store: the unit type at index 0, every reference resolvable, and a
/// structural (non-variable) type refers only to types stored before it, so that only
/// variable bounds can close a cycle.
pub open spec fn types_wf(ts: Seq<TypeModel>) -> bool {
    &&& ts.len() > 0
    &&& ts[0] == TypeModel::Primitive(unit_name())
    &&& forall|i: int| 0 <= i < ts.len() ==> refs_below(children(#[trigger] ts[i]), ts.len())
    &&& forall|i: int|
        0 <= i < ts.len() && !(ts[i] is Variable) ==> refs_below(children(#[trigger] ts[i]), i as nat)
}

/// A type that a representational type is built from when it is displayed.
#[derive(Debug)]
pub enum RepresentationalType {
    Top,
    Bot,
    Union(Box<RepresentationalType>, Box<RepresentationalType>),
    Inter(Box<RepresentationalType>, Box<RepresentationalType>),
    Function(Vec<RepresentationalType>, Box<RepresentationalType>),
    Recursive(usize, Box<RepresentationalType>),
    Variable(usize),
    Primitive(String),
    VariantTag { root: WithId<Spanned<IdentifierNode>>, variant: WithId<Spanned<IdentifierNode>> },
    Tuple(Vec<RepresentationalType>),
}

} // verus!
