use crate::lumo_type::{LumoFnType, LumoProductType};
use vstd::prelude::*;

verus! {

/// A node of the serialized program form that carries an id.
pub trait WithId {
    spec fn spec_id(&self) -> usize;

    fn id(&self) -> (r: usize)
        ensures
            r == self.spec_id(),
    ;
}

#[derive(Debug, PartialEq, Eq)]
pub struct LumoProgram {
    pub id: usize,
    pub items: Vec<LumoItem>,
}

impl WithId for LumoProgram {
    open spec fn spec_id(&self) -> usize {
        self.id
    }

    fn id(&self) -> (r: usize) {
        self.id
    }
}

#[derive(Debug, PartialEq, Eq)]
pub enum LumoItem {
    ExternFn { id: usize, name: String, ty: LumoFnType },
    DefineEnum { id: usize, name: String, variants: Vec<(String, LumoProductType)> },
    Expr(LumoExpr),
}

impl WithId for LumoItem {
    open spec fn spec_id(&self) -> usize {
        match self {
            LumoItem::ExternFn { id, .. } => *id,
            LumoItem::DefineEnum { id, .. } => *id,
            LumoItem::Expr(expr) => expr.spec_id(),
        }
    }

    fn id(&self) -> (r: usize) {
        match self {
            LumoItem::ExternFn { id, .. } | LumoItem::DefineEnum { id, .. } => *id,
            LumoItem::Expr(expr) => expr.id(),
        }
    }
}

#[derive(Debug, PartialEq, Eq)]
pub enum LumoExpr {
    Name { id: usize, content: String },
    Call { id: usize, function: Box<LumoExpr>, parameters: Vec<LumoExpr> },
    LitInteger { id: usize, content: String },
    Match(LumoMatchExpr),
}

impl WithId for LumoExpr {
    open spec fn spec_id(&self) -> usize {
        match self {
            LumoExpr::Name { id, .. } => *id,
            LumoExpr::Call { id, .. } => *id,
            LumoExpr::LitInteger { id, .. } => *id,
            LumoExpr::Match(match_expr) => match_expr.id,
        }
    }

    fn id(&self) -> (r: usize) {
        match self {
            LumoExpr::Name { id, .. } | LumoExpr::Call { id, .. } | LumoExpr::LitInteger { id, .. } => *id,
            LumoExpr::Match(match_expr) => match_expr.id,
        }
    }
}

#[derive(Debug, PartialEq, Eq)]
pub struct LumoMatchExpr {
    pub id: usize,
    pub target: Box<LumoExpr>,
    pub match_arms: Vec<LumoMatchArm>,
}

impl WithId for LumoMatchExpr {
    open spec fn spec_id(&self) -> usize {
        self.id
    }

    fn id(&self) -> (r: usize) {
        self.id
    }
}

/// A match arm pattern. A destructuring maps field names to sub-patterns, kept in order;
/// a well-formed one names each field once (`arm_names_distinct`), and `==` compares in order.
#[derive(Debug, PartialEq, Eq)]
pub enum LumoMatchArm {
    Discard { id: usize },
    LetName { id: usize, content: String },
    Destructure { id: usize, map: Vec<(String, Box<LumoMatchArm>)> },
    Equals { id: usize, target: Box<LumoExpr> },
}

/// The field names of a destructuring are pairwise distinct.
pub open spec fn arm_names_distinct(map: Seq<(String, Box<LumoMatchArm>)>) -> bool {
    forall|i: int, j: int| 0 <= i < j < map.len() ==> (#[trigger] map[i]).0@ != (#[trigger] map[j]).0@
}

impl WithId for LumoMatchArm {
    open spec fn spec_id(&self) -> usize {
        match self {
            LumoMatchArm::Discard { id } => *id,
            LumoMatchArm::LetName { id, .. } => *id,
            LumoMatchArm::Destructure { id, .. } => *id,
            LumoMatchArm::Equals { id, .. } => *id,
        }
    }

    fn id(&self) -> (r: usize) {
        match self {
            LumoMatchArm::Discard { id, .. }
            | LumoMatchArm::LetName { id, .. }
            | LumoMatchArm::Destructure { id, .. }
            | LumoMatchArm::Equals { id, .. } => *id,
        }
    }
}

} // verus!
