use crate::ast::{ident_text, IdentifierNode, TypeNode, WithId};
use crate::error::InferError;
use crate::scope::Scope;
use crate::span::Spanned;
use crate::ty::SimpleTypeRef;
use vstd::prelude::*;

verus! {

/// The identifiers of a path joined by `.`.
pub open spec fn joined_path(ids: Seq<WithId<Spanned<IdentifierNode>>>) -> Seq<char>
    decreases ids.len(),
{
    if ids.len() == 0 {
        Seq::empty()
    } else if ids.len() == 1 {
        ident_text(ids[0])
    } else {
        joined_path(ids.drop_last()) + "."@ + ident_text(ids.last())
    }
}

pub open spec fn path_message() -> Seq<char> {
    "cannot transform path type syntax"@
}

pub open spec fn tuple_message() -> Seq<char> {
    "cannot transform tuple type syntax"@
}

/// What a type written in the source denotes: the type bound to a path, or the error.
pub open spec fn lowered(names: Map<Seq<char>, SimpleTypeRef>, node: TypeNode) -> Result<SimpleTypeRef, Seq<char>> {
    match node {
        TypeNode::Path(p) => if names.dom().contains(joined_path(p.0@)) {
            Ok(names[joined_path(p.0@)])
        } else {
            Err(path_message())
        },
        TypeNode::Tuple(_) => Err(tuple_message()),
    }
}

fn join_path(ids: &Vec<WithId<Spanned<IdentifierNode>>>) -> (r: String)
    ensures
        r@ == joined_path(ids@),
{
    let mut s = String::new();
    let mut i: usize = 0;
    while i < ids.len()
        invariant
            i <= ids@.len(),
            s@ == joined_path(ids@.subrange(0, i as int)),
        decreases ids@.len() - i,
    {
        if i > 0 {
            s.append(".");
        }
        s.append(ids[i].1.1.0.content.as_str());
        i = i + 1;
        proof {
            let sub = ids@.subrange(0, i as int);
            assert(sub.drop_last() =~= ids@.subrange(0, i - 1));
        }
    }
    assert(ids@.subrange(0, ids@.len() as int) =~= ids@);
    s
}

/// Lowers a type written in the source: a path names a type bound in the scope; tuple
/// types are not supported yet.
pub fn transform_syntax_type(scope: &mut Scope, node: &TypeNode) -> (r: Result<SimpleTypeRef, InferError>)
    ensures
        final(scope).types() == old(scope).types(),
        final(scope).names() == old(scope).names(),
        match (r, lowered(old(scope).names(), *node)) {
            (Ok(t), Ok(u)) => t == u,
            (Err(e), Err(m)) => e.message@ == m,
            _ => false,
        },
{
    match node {
        TypeNode::Path(path_node) => {
            let path = join_path(&path_node.0);
            match scope.get_ref(&path) {
                Some(t) => Ok(t),
                None => {
                    let message = String::from_str("cannot transform path type syntax");
                    proof {
                        reveal_strlit("cannot transform path type syntax");
                    }
                    Err(InferError::new(message))
                },
            }
        },
        TypeNode::Tuple(_) => {
            let message = String::from_str("cannot transform tuple type syntax");
            Err(InferError::new(message))
        },
    }
}

} // verus!
