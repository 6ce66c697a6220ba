//! The slice of the intermediate representation this pass works on: an
//! expression tree for unsigned integers of a fixed nominal width, the bound
//! metadata attached to its nodes, and the statement and program shells
//! around it.  Field and boolean expressions are collaborators folded by the
//! generic traversal; they appear here only as operands carried through
//! untouched.

use vstd::prelude::*;

verus! {

/// The declared type of a variable binding.
#[derive(Clone, Copy, PartialEq, Eq, Structural, Debug)]
pub enum Type {
    Boolean,
    FieldElement,
    Uint(usize),
}

/// A variable binding: a name together with its declared type.  Bindings are
/// single-assignment, so a name and a type identify a definition.
#[derive(Clone, PartialEq, Eq, Debug)]
pub struct Variable {
    pub name: String,
    pub ty: Type,
}

impl Variable {
    /// The binding of an unsigned-integer variable of the given nominal width.
    pub fn uint(name: String, bitwidth: usize) -> (r: Variable)
        ensures
            r == (Variable { name, ty: Type::Uint(bitwidth) }),
    {
        Variable { name, ty: Type::Uint(bitwidth) }
    }
}

/// Bound annotation attached to an unsigned-integer expression node.
///
/// `bitwidth` is an upper bound, in bits, on the value the node can take
/// before any reduction; `should_reduce` tells the consumer of the node to
/// bring the value back into the canonical range `[0, 2^range)` before using
/// it.  Either field is absent only on nodes that have not been through the
/// pass yet.
#[derive(Clone, Copy, PartialEq, Eq, Debug)]
pub struct UMetadata {
    pub bitwidth: Option<usize>,
    pub should_reduce: Option<bool>,
}

/// An expression that the surrounding compiler folds as a field element.
/// Opaque to this pass.
#[derive(Clone, PartialEq, Eq, Debug)]
pub enum FieldExpression {
    Number(u128),
    Identifier(String),
}

/// An expression that the surrounding compiler folds as a boolean.
/// Opaque to this pass.
#[derive(Clone, PartialEq, Eq, Debug)]
pub enum BooleanExpression {
    Value(bool),
    Identifier(String),
}

/// An unsigned-integer expression: the nominal width of its static type, an
/// optional bound annotation, and the operator node itself.
#[derive(PartialEq, Eq, Debug)]
pub struct UExpression {
    pub bitwidth: usize,
    pub metadata: Option<UMetadata>,
    pub inner: UExpressionInner,
}

/// The operator at the root of an unsigned-integer expression.
#[derive(PartialEq, Eq, Debug)]
pub enum UExpressionInner {
    Value(u128),
    Identifier(String),
    Add(Box<UExpression>, Box<UExpression>),
    Sub(Box<UExpression>, Box<UExpression>),
    Mult(Box<UExpression>, Box<UExpression>),
    Xor(Box<UExpression>, Box<UExpression>),
    And(Box<UExpression>, Box<UExpression>),
    Or(Box<UExpression>, Box<UExpression>),
    Not(Box<UExpression>),
    LeftShift(Box<UExpression>, Box<FieldExpression>),
    RightShift(Box<UExpression>, Box<FieldExpression>),
    IfElse(Box<BooleanExpression>, Box<UExpression>, Box<UExpression>),
    FunctionCall(String, Vec<ZirExpression>),
}

/// An expression of any of the three value kinds.
#[derive(PartialEq, Eq, Debug)]
pub enum ZirExpression {
    Boolean(BooleanExpression),
    FieldElement(FieldExpression),
    Uint(UExpression),
}

/// A statement.  The pass rewrites `Definition` and `Return`; every other
/// kind is left to the generic traversal.
#[derive(PartialEq, Eq, Debug)]
pub enum ZirStatement {
    Definition(Variable, ZirExpression),
    Assertion(BooleanExpression),
    Return(Vec<ZirExpression>),
}

/// A function: a name, its parameters, and its body in order.
#[derive(PartialEq, Eq, Debug)]
pub struct ZirFunction {
    pub id: String,
    pub arguments: Vec<Variable>,
    pub statements: Vec<ZirStatement>,
}

/// A whole program: its functions in order.
#[derive(PartialEq, Eq, Debug)]
pub struct ZirProgram {
    pub functions: Vec<ZirFunction>,
}

impl UExpressionInner {
    /// Wrap an operator node into an expression of the given nominal width,
    /// with no bound annotation yet.
    pub fn annotate(self, bitwidth: usize) -> (r: UExpression)
        ensures
            r == (UExpression { bitwidth, metadata: None, inner: self }),
    {
        UExpression { bitwidth, metadata: None, inner: self }
    }
}

impl UExpression {
    /// Replace the node's bound annotation.
    pub fn with_metadata(self, metadata: UMetadata) -> (r: UExpression)
        ensures
            r == (UExpression { metadata: Some(metadata), ..self }),
    {
        UExpression { metadata: Some(metadata), ..self }
    }
}

/// A statement as the contracts see it: identical to `ZirStatement`, with
/// the returned expressions as a mathematical sequence.  Spec-only.
pub enum StatementModel {
    Definition(Variable, ZirExpression),
    Assertion(BooleanExpression),
    Return(Seq<ZirExpression>),
}

/// The model of a statement.
pub open spec fn statement_model(s: ZirStatement) -> StatementModel {
    match s {
        ZirStatement::Definition(a, e) => StatementModel::Definition(a, e),
        ZirStatement::Assertion(b) => StatementModel::Assertion(b),
        ZirStatement::Return(es) => StatementModel::Return(es@),
    }
}

/// Both fields of a bound annotation are present.
pub open spec fn resolved(m: UMetadata) -> bool {
    m.bitwidth is Some && m.should_reduce is Some
}

/// Every annotation the pass may consult in `e` is fully resolved.  An
/// annotated node is returned unchanged, so below one nothing is inspected.
pub open spec fn metadata_resolved(e: UExpression) -> bool
    decreases e,
{
    &&& (e.metadata matches Some(m) ==> resolved(m))
    &&& (e.metadata is None ==> match e.inner {
        UExpressionInner::Add(l, r) => metadata_resolved(*l) && metadata_resolved(*r),
        UExpressionInner::Sub(l, r) => metadata_resolved(*l) && metadata_resolved(*r),
        UExpressionInner::Mult(l, r) => metadata_resolved(*l) && metadata_resolved(*r),
        UExpressionInner::Xor(l, r) => metadata_resolved(*l) && metadata_resolved(*r),
        UExpressionInner::And(l, r) => metadata_resolved(*l) && metadata_resolved(*r),
        UExpressionInner::Or(l, r) => metadata_resolved(*l) && metadata_resolved(*r),
        UExpressionInner::Not(x) => metadata_resolved(*x),
        UExpressionInner::LeftShift(x, _) => metadata_resolved(*x),
        UExpressionInner::RightShift(x, _) => metadata_resolved(*x),
        UExpressionInner::IfElse(_, c, a) => metadata_resolved(*c) && metadata_resolved(*a),
        _ => true,
    })
}

/// The annotations an expression of any kind exposes to the pass are resolved.
pub open spec fn expression_resolved(e: ZirExpression) -> bool {
    e matches ZirExpression::Uint(u) ==> metadata_resolved(u)
}

/// The annotations a statement exposes to the pass are resolved.
pub open spec fn statement_resolved(s: ZirStatement) -> bool {
    match s {
        ZirStatement::Definition(_, e) => expression_resolved(e),
        ZirStatement::Return(es) => forall|i: int|
            0 <= i < es@.len() ==> expression_resolved(#[trigger] es@[i]),
        _ => true,
    }
}

/// The annotations a function exposes to the pass are resolved.
pub open spec fn function_resolved(f: ZirFunction) -> bool {
    forall|i: int| 0 <= i < f.statements@.len() ==> statement_resolved(#[trigger] f.statements@[i])
}

/// The annotations a program exposes to the pass are resolved.
pub open spec fn program_resolved(p: ZirProgram) -> bool {
    forall|i: int| 0 <= i < p.functions@.len() ==> function_resolved(#[trigger] p.functions@[i])
}

} // verus!
