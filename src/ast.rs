use crate::span::Spanned;
use crate::token::Token;
use vstd::prelude::*;

verus! {

/// A syntax node together with the integer id that the parser gave it.
#[derive(Clone, Debug)]
pub struct WithId<T>(pub usize, pub T);

impl<T> WithId<Spanned<T>> {
    /// Moves the span outside the id: `WithId(i, Spanned(s, v))` becomes `Spanned(s, WithId(i, v))`.
    pub fn transpose(self) -> (r: Spanned<WithId<T>>)
        ensures
            r.0 == self.1.0,
            r.1.0 == self.0,
            r.1.1 == self.1.1,
    {
        Spanned(self.1.0, WithId(self.0, self.1.1))
    }

    /// Applies `f` to the value under both the id and the span.
    pub fn map_deep<U, F: FnOnce(T) -> U>(self, f: F) -> (r: WithId<Spanned<U>>)
        requires
            f.requires((self.1.1,)),
        ensures
            r.0 == self.0,
            r.1.0 == self.1.0,
            f.ensures((self.1.1,), r.1.1),
    {
        WithId(self.0, self.1.map(f))
    }
}

impl<T> WithId<T> {
    pub fn new(id: usize, value: T) -> (r: WithId<T>)
        ensures
            r.0 == id,
            r.1 == value,
    {
        WithId(id, value)
    }

    pub fn id(&self) -> (r: usize)
        ensures
            r == self.0,
    {
        self.0
    }

    /// Applies `f` to the value and keeps the id.
    pub fn map<U, F: FnOnce(T) -> U>(self, f: F) -> (r: WithId<U>)
        requires
            f.requires((self.1,)),
        ensures
            r.0 == self.0,
            f.ensures((self.1,), r.1),
    {
        WithId(self.0, f(self.1))
    }

    pub fn inner(self) -> (r: T)
        ensures
            r == self.1,
    {
        self.1
    }
}

// ---------------------------------------------------------------- fragments

#[derive(Clone, Debug)]
pub struct IdentifierNode(pub Token);

/// The text of an identifier that carries an id and a span.
pub open spec fn ident_text(i: WithId<Spanned<IdentifierNode>>) -> Seq<char> {
    i.1.1.0.content@
}

/// A copy of an identifier node, field by field.
pub fn copy_identifier(i: &WithId<Spanned<IdentifierNode>>) -> (r: WithId<Spanned<IdentifierNode>>)
    ensures
        ident_text(r) == ident_text(*i),
{
    let span = crate::span::Span::new(crate::span::copy_offset(&i.1.0.start), crate::span::copy_offset(&i.1.0.end));
    let token = Token { kind: i.1.1.0.kind, content: i.1.1.0.content.clone() };
    WithId(i.0, Spanned(span, IdentifierNode(token)))
}

#[derive(Clone, Debug)]
pub struct PathNode(pub Vec<WithId<Spanned<IdentifierNode>>>);

#[derive(Debug)]
pub enum TypeNode {
    Path(PathNode),
    Tuple(Vec<TypeNode>),
}

#[derive(Debug)]
pub enum PatternNode {
    NameBind(Spanned<IdentifierNode>),
    SimplePattern(SimplePatternNode),
}

#[derive(Debug)]
pub enum SimplePatternNode {
    Discard(Token),
    TaggedDestructuring(WithId<Spanned<DestructuringTagNode>>, WithId<Spanned<DestructuringBodyNode>>),
}

#[derive(Clone, Debug)]
pub enum DestructuringTagNode {
    /// `.some(x)`: the enum is left to inference.
    Inferred(WithId<Spanned<IdentifierNode>>),
    /// `Option.some(x)`: the enum is written out.
    Full(WithId<Spanned<PathNode>>),
}

#[derive(Debug)]
pub enum DestructuringBodyNode {
    Empty,
    Positional(Vec<WithId<Spanned<PatternNode>>>),
    Named(Vec<(WithId<Spanned<IdentifierNode>>, WithId<Spanned<PatternNode>>)>),
}

// ---------------------------------------------------------------- operators

#[derive(Clone, Debug)]
pub enum PrefixOperatorKind {
    Not,
    Negate,
}

#[derive(Clone, Debug)]
pub enum InfixOperatorKind {
    Add,
    Multiply,
}

#[derive(Debug)]
pub enum PostfixOperatorKind {
    FieldAccess(WithId<Spanned<IdentifierNode>>),
    FunctionCall(Vec<WithId<Spanned<ExpressionNode>>>),
    Index(Vec<WithId<Spanned<ExpressionNode>>>),
}

#[derive(Debug)]
pub struct PrefixOperatorNode {
    pub kind: WithId<Spanned<PrefixOperatorKind>>,
    pub expr: WithId<Spanned<Box<ExpressionNode>>>,
}

#[derive(Debug)]
pub struct InfixOperatorNode {
    pub lhs: WithId<Spanned<Box<ExpressionNode>>>,
    pub kind: WithId<Spanned<InfixOperatorKind>>,
    pub rhs: WithId<Spanned<Box<ExpressionNode>>>,
}

#[derive(Debug)]
pub struct PostfixOperatorNode {
    pub expr: WithId<Spanned<Box<ExpressionNode>>>,
    pub kind: WithId<Spanned<PostfixOperatorKind>>,
}

// ---------------------------------------------------------------- expressions

#[derive(Debug)]
pub enum ExpressionNode {
    FunctionCall(FunctionCallNode),
    Match(MatchNode),
    PrefixOperator(PrefixOperatorNode),
    InfixOperator(InfixOperatorNode),
    PostfixOperator(PostfixOperatorNode),
    Name(NameNode),
    Block(BlockNode),
    EnumVariant(EnumVariantNode),
}

#[derive(Debug)]
pub struct FunctionCallNode {
    pub f: Box<ExpressionNode>,
    pub args: Vec<FunctionCallArgumentNode>,
}

#[derive(Debug)]
pub enum FunctionCallArgumentNode {
    Expr(ExpressionNode),
    MutName(IdentifierNode),
}

#[derive(Debug)]
pub struct MatchNode {
    pub expr: Box<WithId<Spanned<ExpressionNode>>>,
    pub arms: Vec<WithId<Spanned<MatchArmNode>>>,
}

#[derive(Debug)]
pub struct MatchArmNode {
    pub pat: WithId<Spanned<PatternNode>>,
    pub body: WithId<Spanned<ExpressionNode>>,
}

#[derive(Debug)]
pub struct NameNode(pub IdentifierNode);

#[derive(Debug)]
pub struct BlockNode(pub Vec<WithId<Spanned<ExpressionNode>>>);

#[derive(Debug)]
pub struct EnumVariantNode {
    pub tag: WithId<Spanned<EnumTagNode>>,
    pub body: WithId<Spanned<CompoundExprBodyNode>>,
}

#[derive(Clone, Debug)]
pub enum EnumTagNode {
    /// `.some`: the enum is left to inference.
    Inferred(WithId<Spanned<IdentifierNode>>),
    /// `Option.some`: the enum is written out.
    Full(WithId<Spanned<PathNode>>),
}

#[derive(Debug)]
pub enum CompoundExprBodyNode {
    Empty,
    Positional(Vec<WithId<Spanned<PatternNode>>>),
    Named(Vec<(WithId<Spanned<IdentifierNode>>, WithId<Spanned<PatternNode>>)>),
}

// ---------------------------------------------------------------- items

#[derive(Debug)]
pub enum ItemNode {
    DeclEnumNode(DeclEnumNode),
    DeclFunctionNode(DeclFunctionNode),
}

/// The name an item is known by.
pub open spec fn item_name(item: ItemNode) -> Seq<char> {
    match item {
        ItemNode::DeclEnumNode(e) => ident_text(e.name),
        ItemNode::DeclFunctionNode(f) => ident_text(f.name),
    }
}

impl ItemNode {
    pub fn representative_name(&self) -> (r: String)
        ensures
            r@ == item_name(*self),
    {
        match self {
            ItemNode::DeclEnumNode(decl_enum_node) => decl_enum_node.name.1.1.0.content.clone(),
            ItemNode::DeclFunctionNode(decl_function_node) => decl_function_node.name.1.1.0.content.clone(),
        }
    }
}

#[derive(Debug)]
pub struct DeclEnumNode {
    pub name: WithId<Spanned<IdentifierNode>>,
    pub branches: Vec<WithId<Spanned<EnumBranchNode>>>,
}

#[derive(Debug)]
pub struct EnumBranchNode {
    pub name: WithId<Spanned<IdentifierNode>>,
    pub fields: Option<WithId<Spanned<FieldsNode>>>,
}

#[derive(Debug)]
pub enum FieldsNode {
    Unnamed(Vec<WithId<Spanned<TypeNode>>>),
    Named(Vec<(WithId<Spanned<IdentifierNode>>, WithId<Spanned<TypeNode>>)>),
}

#[derive(Debug)]
pub struct DeclFunctionNode {
    pub name: WithId<Spanned<IdentifierNode>>,
    pub parameters: Vec<WithId<Spanned<FunctionParameterNode>>>,
    pub return_type: Option<WithId<Spanned<TypeNode>>>,
    pub body: Option<WithId<Spanned<ExpressionNode>>>,
}

#[derive(Debug)]
pub struct FunctionParameterNode {
    pub pattern: WithId<Spanned<FunctionParameterPatternNode>>,
    pub ty: Option<WithId<Spanned<TypeNode>>>,
}

#[derive(Debug)]
pub enum FunctionParameterPatternNode {
    Bind(IdentifierNode),
    MutBind(IdentifierNode),
    SimplePattern(PatternNode),
}

} // verus!
