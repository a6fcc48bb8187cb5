use vstd::prelude::*;

verus! {

/// Comparison operators of the language; conditions use only `Equal` so far.
#[derive(Clone, Copy, Debug, PartialEq, Eq, Structural)]
pub enum ComparisonOperator {
    Equal,
    NotEqual,
    GreaterEqual,
    LesserEqual,
}

#[derive(Clone, Copy, Debug, PartialEq, Eq, Structural)]
pub enum BinaryOperator {
    Plus,
    Minus,
}

/// A node of the syntax tree. Each sub-node is owned by its parent.
/// `Assignment` has no grammar rule yet and is never produced by the parser.
#[derive(Debug)]
#[allow(inconsistent_fields)]
pub enum Node {
    Declaration { target: String, value: Box<Node> },
    Assignment { target: Box<Node>, value: Box<Node> },
    Variable { name: String },
    IntLiteral { value: i64 },
    While { condition: Box<Node>, body: Box<Vec<Node>> },
    ComparisonOp { lhs: Box<Node>, rhs: Box<Node>, op: ComparisonOperator },
    BinaryOp { lhs: Box<Node>, rhs: Box<Node>, op: BinaryOperator },
}

/// The mathematical form of a syntax tree, names as character sequences.
#[allow(inconsistent_fields)]
pub enum Term {
    Declaration { target: Seq<char>, value: Box<Term> },
    Assignment { target: Box<Term>, value: Box<Term> },
    Variable { name: Seq<char> },
    IntLiteral { value: i64 },
    While { condition: Box<Term>, body: Seq<Term> },
    ComparisonOp { lhs: Box<Term>, rhs: Box<Term>, op: ComparisonOperator },
    BinaryOp { lhs: Box<Term>, rhs: Box<Term>, op: BinaryOperator },
}

impl Node {
    /// The node has the shape, names and values of `t`.
    pub open spec fn models(&self, t: Term) -> bool
        decreases t,
    {
        match t {
            Term::Declaration { target, value } => match self {
                Node::Declaration { target: nt, value: nv } => nt@ == target && nv.models(*value),
                _ => false,
            },
            Term::Assignment { target, value } => match self {
                Node::Assignment { target: nt, value: nv } => nt.models(*target) && nv.models(
                    *value,
                ),
                _ => false,
            },
            Term::Variable { name } => match self {
                Node::Variable { name: nn } => nn@ == name,
                _ => false,
            },
            Term::IntLiteral { value } => match self {
                Node::IntLiteral { value: nv } => *nv == value,
                _ => false,
            },
            Term::While { condition, body } => match self {
                Node::While { condition: nc, body: nb } => nc.models(*condition) && nb@.len()
                    == body.len() && forall|k: int|
                    0 <= k < body.len() ==> (#[trigger] nb@[k]).models(body[k]),
                _ => false,
            },
            Term::ComparisonOp { lhs, rhs, op } => match self {
                Node::ComparisonOp { lhs: nl, rhs: nr, op: no } => nl.models(*lhs) && nr.models(
                    *rhs,
                ) && *no == op,
                _ => false,
            },
            Term::BinaryOp { lhs, rhs, op } => match self {
                Node::BinaryOp { lhs: nl, rhs: nr, op: no } => nl.models(*lhs) && nr.models(*rhs)
                    && *no == op,
                _ => false,
            },
        }
    }
}

/// Each node models the term at the same position.
pub open spec fn models_all(ns: Seq<Node>, ts: Seq<Term>) -> bool {
    &&& ns.len() == ts.len()
    &&& forall|k: int| 0 <= k < ts.len() ==> (#[trigger] ns[k]).models(ts[k])
}

/// A parsed program: its top-level statements in source order.
#[derive(Debug)]
pub struct Ast {
    pub nodes: Vec<Node>,
}

impl Ast {
    pub fn new() -> (a: Ast)
        ensures
            a.nodes@.len() == 0,
    {
        Ast { nodes: Vec::new() }
    }
}

} // verus!
