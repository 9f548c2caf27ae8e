//! The abstract syntax tree that the engine scans. A parser adapter outside
//! the engine produces these nodes; the engine only reads them.

use vstd::prelude::*;

verus! {

/// A source region, in line/column coordinates, inclusive on both ends.
#[derive(Clone, Copy, Debug, PartialEq, Eq, Structural)]
pub struct Span {
    pub start_line: u32,
    pub start_col: u32,
    pub end_line: u32,
    pub end_col: u32,
}

/// A source position `(line, col)` is at or before another.
pub open spec fn pos_le(l1: u32, c1: u32, l2: u32, c2: u32) -> bool {
    l1 < l2 || (l1 == l2 && c1 <= c2)
}

/// `outer` contains `inner` entirely (strict span containment, not
/// line-proximity: the inner region must start and end inside the outer one).
pub open spec fn span_contains(outer: Span, inner: Span) -> bool {
    pos_le(outer.start_line, outer.start_col, inner.start_line, inner.start_col)
        && pos_le(inner.end_line, inner.end_col, outer.end_line, outer.end_col)
}

/// Decides strict span containment.
pub fn span_contains_exec(outer: &Span, inner: &Span) -> (r: bool)
    ensures
        r == span_contains(*outer, *inner),
{
    let starts_ok = outer.start_line < inner.start_line || (outer.start_line == inner.start_line
        && outer.start_col <= inner.start_col);
    let ends_ok = inner.end_line < outer.end_line || (inner.end_line == outer.end_line
        && inner.end_col <= outer.end_col);
    starts_ok && ends_ok
}

/// A binary operator, as far as the rule patterns need to tell them apart.
#[derive(Clone, Copy, Debug, PartialEq, Eq, Structural)]
pub enum BinOp {
    Eq,
    Ne,
    Lt,
    Le,
    Gt,
    Ge,
    Add,
    Sub,
    Mul,
    Div,
    And,
    Or,
    BitAnd,
    BitOr,
}

/// The shape of a match arm's pattern, as far as the rule patterns need it.
#[derive(Clone, Copy, Debug, PartialEq, Eq, Structural)]
pub enum ArmPat {
    LitTrue,
    LitFalse,
    SomePat,
    NonePat,
    Wildcard,
    OtherPat,
}

/// The kind tag of a node, with the metadata the rule predicates consult.
pub enum NodeKind {
    /// A binary expression; children: left operand, right operand.
    Binary(BinOp),
    /// A method call by name; children: receiver, then the arguments.
    MethodCall(String),
    /// A free function call by name; children: the arguments.
    FnCall(String),
    /// An integer literal.
    IntLit(i64),
    /// A boolean literal.
    BoolLit(bool),
    /// A string literal.
    StrLit(String),
    /// An identifier.
    Ident(String),
    /// An `if`; children: condition, then-branch, and an optional else-branch.
    If,
    /// A `match`; children: scrutinee, then the arms.
    Match,
    /// One match arm; children: the arm's body.
    Arm(ArmPat),
    /// A block of statements; children: the statements in order.
    Block,
    /// Any other construct, tagged for completeness; children in source order.
    Other,
}

/// One node of the tree. `children` are in source order.
pub struct AstNode {
    pub kind: NodeKind,
    pub span: Span,
    pub children: Vec<AstNode>,
}

/// Two kind tags are the same, comparing names by their characters.
pub open spec fn kind_eq(a: NodeKind, b: NodeKind) -> bool {
    match (a, b) {
        (NodeKind::Binary(x), NodeKind::Binary(y)) => x == y,
        (NodeKind::MethodCall(x), NodeKind::MethodCall(y)) => x@ == y@,
        (NodeKind::FnCall(x), NodeKind::FnCall(y)) => x@ == y@,
        (NodeKind::IntLit(x), NodeKind::IntLit(y)) => x == y,
        (NodeKind::BoolLit(x), NodeKind::BoolLit(y)) => x == y,
        (NodeKind::StrLit(x), NodeKind::StrLit(y)) => x@ == y@,
        (NodeKind::Ident(x), NodeKind::Ident(y)) => x@ == y@,
        (NodeKind::If, NodeKind::If) => true,
        (NodeKind::Match, NodeKind::Match) => true,
        (NodeKind::Arm(x), NodeKind::Arm(y)) => x == y,
        (NodeKind::Block, NodeKind::Block) => true,
        (NodeKind::Other, NodeKind::Other) => true,
        _ => false,
    }
}

/// Two nodes are structurally equal: same kinds and same child structure,
/// whatever their spans.
pub open spec fn node_eq(a: AstNode, b: AstNode) -> bool
    decreases a,
{
    kind_eq(a.kind, b.kind) && children_eq(a.children@, b.children@)
}

/// Two child sequences are pointwise structurally equal.
pub open spec fn children_eq(x: Seq<AstNode>, y: Seq<AstNode>) -> bool
    decreases x,
{
    x.len() == y.len() && (x.len() == 0 || (node_eq(x[0], y[0]) && children_eq(
        x.drop_first(),
        y.drop_first(),
    )))
}

/// Pointwise characterization of `children_eq`.
pub proof fn lemma_children_eq_iff(x: Seq<AstNode>, y: Seq<AstNode>)
    ensures
        children_eq(x, y) <==> (x.len() == y.len() && forall|i: int|
            0 <= i < x.len() ==> node_eq(x[i], y[i])),
    decreases x.len(),
{
    if x.len() > 0 && x.len() == y.len() {
        lemma_children_eq_iff(x.drop_first(), y.drop_first());
        assert forall|i: int|
            0 <= i < x.drop_first().len() implies x.drop_first()[i] == x[i + 1]
            && y.drop_first()[i] == y[i + 1] by {}
        if children_eq(x, y) {
            assert forall|i: int| 0 <= i < x.len() implies node_eq(x[i], y[i]) by {
                if i > 0 {
                    assert(node_eq(x.drop_first()[i - 1], y.drop_first()[i - 1]));
                }
            }
        }
        if x.len() == y.len() && forall|i: int| 0 <= i < x.len() ==> node_eq(x[i], y[i]) {
            assert forall|i: int|
                0 <= i < x.drop_first().len() implies node_eq(
                x.drop_first()[i],
                y.drop_first()[i],
            ) by {
                assert(node_eq(x[i + 1], y[i + 1]));
            }
        }
    }
}

/// Decides whether two kind tags are the same.
pub fn kind_eq_exec(a: &NodeKind, b: &NodeKind) -> (r: bool)
    ensures
        r == kind_eq(*a, *b),
{
    match (a, b) {
        (NodeKind::Binary(x), NodeKind::Binary(y)) => x == y,
        (NodeKind::MethodCall(x), NodeKind::MethodCall(y)) => crate::text::str_eq_str(
            x.as_str(),
            y.as_str(),
        ),
        (NodeKind::FnCall(x), NodeKind::FnCall(y)) => crate::text::str_eq_str(
            x.as_str(),
            y.as_str(),
        ),
        (NodeKind::IntLit(x), NodeKind::IntLit(y)) => x == y,
        (NodeKind::BoolLit(x), NodeKind::BoolLit(y)) => x == y,
        (NodeKind::StrLit(x), NodeKind::StrLit(y)) => crate::text::str_eq_str(
            x.as_str(),
            y.as_str(),
        ),
        (NodeKind::Ident(x), NodeKind::Ident(y)) => crate::text::str_eq_str(
            x.as_str(),
            y.as_str(),
        ),
        (NodeKind::If, NodeKind::If) => true,
        (NodeKind::Match, NodeKind::Match) => true,
        (NodeKind::Arm(x), NodeKind::Arm(y)) => x == y,
        (NodeKind::Block, NodeKind::Block) => true,
        (NodeKind::Other, NodeKind::Other) => true,
        _ => false,
    }
}

/// Decides structural equality of two nodes.
pub fn node_eq_exec(a: &AstNode, b: &AstNode) -> (r: bool)
    ensures
        r == node_eq(*a, *b),
    decreases *a,
{
    if !kind_eq_exec(&a.kind, &b.kind) {
        return false;
    }
    if a.children.len() != b.children.len() {
        proof {
            lemma_children_eq_iff(a.children@, b.children@);
        }
        return false;
    }
    let n = a.children.len();
    let mut i: usize = 0;
    while i < n
        invariant
            i <= n,
            n == a.children@.len(),
            n == b.children@.len(),
            kind_eq(a.kind, b.kind),
            forall|j: int| 0 <= j < i ==> node_eq(a.children@[j], b.children@[j]),
        decreases n - i,
    {
        if !node_eq_exec(&a.children[i], &b.children[i]) {
            proof {
                lemma_children_eq_iff(a.children@, b.children@);
            }
            return false;
        }
        i = i + 1;
    }
    proof {
        lemma_children_eq_iff(a.children@, b.children@);
    }
    true
}

} // verus!
